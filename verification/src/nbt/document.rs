//! A whole NBT document: a named root compound.
use vstd::prelude::*;



use super::codec::serialize_string;
use super::decode::get_nbt_string;
use super::error::Error;
use super::format::{entries_strings_roundtrip, parse_document, ser_document, string_roundtrips};
use super::reader::ReadAdaptor;
use super::value::{NbtCompound, NbtValue, COMPOUND_ID};
use super::writer::WriteAdaptor;

verus! {

#[verifier::external_type_specification]
#[verifier::external_body]
pub struct ExBytes(bytes::Bytes);

/// The bytes held by a `bytes::Bytes` buffer.
pub uninterp spec fn bytes_content(b: bytes::Bytes) -> Seq<u8>;

/// Calls `Bytes::from(Vec<u8>)`. Trusted: the buffer holds exactly the bytes of
/// the vector (the conversion takes over the vector's allocation).
#[verifier::external_body]
fn bytes_from_vec(v: Vec<u8>) -> (b: bytes::Bytes)
    ensures
        bytes_content(b) == v@,
{
    bytes::Bytes::from(v)
}

/// A document: the name of its root compound and the compound.
#[derive(Debug, PartialEq, Default)]
pub struct Nbt {
    pub name: String,
    pub root_tag: NbtCompound,
}

impl Nbt {
    pub fn new(name: String, tag: NbtCompound) -> (n: Nbt)
        ensures
            n.name == name,
            n.root_tag == tag,
    {
        Nbt { name, root_tag: tag }
    }

    /// Reads a document with a root name.
    pub fn read(reader: &mut ReadAdaptor) -> (r: Result<Nbt, Error>)
        ensures
            final(reader).data() == old(reader).data(),
            match parse_document(old(reader).data(), old(reader).pos(), true) {
                Ok((name, entries, p)) => r is Ok && r->Ok_0.name@ == name && r->Ok_0.root_tag@
                    == entries && final(reader).pos() == p,
                Err(e) => r == Err::<Nbt, Error>(e),
            },
    {
        proof {
            use_type_invariant(&*reader);
        }
        let tag_type_id = reader.get_u8_be()?;
        if tag_type_id != COMPOUND_ID {
            return Err(Error::NoRootCompound(tag_type_id));
        }
        let name = get_nbt_string(reader)?;
        let root_tag = NbtCompound::deserialize_content(reader)?;
        Ok(Nbt { name, root_tag })
    }

    /// Reads a document that does not carry the name of its root compound.
    pub fn read_unnamed(reader: &mut ReadAdaptor) -> (r: Result<Nbt, Error>)
        ensures
            final(reader).data() == old(reader).data(),
            match parse_document(old(reader).data(), old(reader).pos(), false) {
                Ok((name, entries, p)) => r is Ok && r->Ok_0.name@ == name && r->Ok_0.root_tag@
                    == entries && final(reader).pos() == p,
                Err(e) => r == Err::<Nbt, Error>(e),
            },
    {
        proof {
            use_type_invariant(&*reader);
        }
        let tag_type_id = reader.get_u8_be()?;
        if tag_type_id != COMPOUND_ID {
            return Err(Error::NoRootCompound(tag_type_id));
        }
        let root_tag = NbtCompound::deserialize_content(reader)?;
        Ok(Nbt { name: String::new(), root_tag })
    }

    /// Encodes the document with its root name, or reports the first length that
    /// does not fit the format.
    pub fn try_write(&self) -> (r: Result<Vec<u8>, Error>)
        ensures
            match ser_document(self.name@, self.root_tag@, true) {
                Ok(b) => r is Ok && r->Ok_0@ == b,
                Err(e) => r == Err::<Vec<u8>, Error>(e),
            },
            r is Ok ==> string_roundtrips(self.name@) && entries_strings_roundtrip(self.root_tag@),
    {
        let mut writer = WriteAdaptor::new();
        writer.write_u8_be(COMPOUND_ID);
        serialize_string(self.name.as_str(), &mut writer)?;
        self.root_tag.serialize_content(&mut writer)?;
        let bytes = writer.into_bytes();
        assert(bytes@ =~= ser_document(self.name@, self.root_tag@, true)->Ok_0);
        Ok(bytes)
    }

    /// Encodes the document without its root name, or reports the first length
    /// that does not fit the format.
    pub fn try_write_unnamed(&self) -> (r: Result<Vec<u8>, Error>)
        ensures
            match ser_document(self.name@, self.root_tag@, false) {
                Ok(b) => r is Ok && r->Ok_0@ == b,
                Err(e) => r == Err::<Vec<u8>, Error>(e),
            },
            r is Ok ==> entries_strings_roundtrip(self.root_tag@),
    {
        let mut writer = WriteAdaptor::new();
        writer.write_u8_be(COMPOUND_ID);
        self.root_tag.serialize_content(&mut writer)?;
        let bytes = writer.into_bytes();
        assert(bytes@ =~= ser_document(self.name@, self.root_tag@, false)->Ok_0);
        Ok(bytes)
    }

    /// Encodes the document with its root name.
    pub fn write(&self) -> (b: bytes::Bytes)
        requires
            ser_document(self.name@, self.root_tag@, true) is Ok,
        ensures
            bytes_content(b) == ser_document(self.name@, self.root_tag@, true)->Ok_0,
            string_roundtrips(self.name@) && entries_strings_roundtrip(self.root_tag@),
    {
        match self.try_write() {
            Ok(v) => bytes_from_vec(v),
            Err(_) => bytes_from_vec(Vec::new()),
        }
    }

    /// Encodes the document without its root name.
    pub fn write_unnamed(&self) -> (b: bytes::Bytes)
        requires
            ser_document(self.name@, self.root_tag@, false) is Ok,
        ensures
            bytes_content(b) == ser_document(self.name@, self.root_tag@, false)->Ok_0,
            entries_strings_roundtrip(self.root_tag@),
    {
        match self.try_write_unnamed() {
            Ok(v) => bytes_from_vec(v),
            Err(_) => bytes_from_vec(Vec::new()),
        }
    }

    /// Encodes the document with its root name, or reports the first length
    /// that does not fit the format.
    pub fn try_write_bytes(&self) -> (r: Result<bytes::Bytes, Error>)
        ensures
            match ser_document(self.name@, self.root_tag@, true) {
                Ok(b) => r is Ok && bytes_content(r->Ok_0) == b,
                Err(e) => r == Err::<bytes::Bytes, Error>(e),
            },
    {
        match self.try_write() {
            Ok(_) => Ok(self.write()),
            Err(e) => Err(e),
        }
    }

    /// Encodes the document without its root name, or reports the first
    /// length that does not fit the format.
    pub fn try_write_unnamed_bytes(&self) -> (r: Result<bytes::Bytes, Error>)
        ensures
            match ser_document(self.name@, self.root_tag@, false) {
                Ok(b) => r is Ok && bytes_content(r->Ok_0) == b,
                Err(e) => r == Err::<bytes::Bytes, Error>(e),
            },
    {
        match self.try_write_unnamed() {
            Ok(_) => Ok(self.write_unnamed()),
            Err(e) => Err(e),
        }
    }
}

} // verus!
