use pumpkin::nbt::decode::get_nbt_string;
use pumpkin::nbt::document::Nbt;
use pumpkin::nbt::error::{Error, IoErrorKind};
use pumpkin::nbt::reader::ReadAdaptor;
use pumpkin::nbt::value::{NbtCompound, NbtTag};
use pumpkin::nbt::writer::WriteAdaptor;

fn sample_compound() -> NbtCompound {
    let mut c = NbtCompound::new();
    c.put_int("a", 7);
    c.put("s", NbtTag::String("hé\u{0}𝄞".to_string()));
    c.put("list", NbtTag::List(vec![NbtTag::Short(1), NbtTag::Short(-2)]));
    c.put("bytes", NbtTag::ByteArray(vec![1, 2, 255]));
    c.put("ints", NbtTag::IntArray(vec![i32::MIN, 0, i32::MAX]));
    c.put("longs", NbtTag::LongArray(vec![i64::MIN, 5]));
    let mut inner = NbtCompound::new();
    inner.put_long("l", -1);
    c.put_component("inner", inner);
    c
}

#[test]
fn named_document_reads_back() {
    let nbt = Nbt::new("root".to_string(), sample_compound());
    let bytes = nbt.try_write().expect("fits");
    let mut reader = ReadAdaptor::new(bytes.clone());
    let back = Nbt::read(&mut reader).expect("reads");
    assert_eq!(back, nbt);
    assert_eq!(reader.position(), bytes.len());
    assert!(reader.is_at_end());
}

#[test]
fn unnamed_document_reads_back_without_name() {
    let nbt = Nbt::new("ignored".to_string(), sample_compound());
    let bytes = nbt.try_write_unnamed().expect("fits");
    let mut reader = ReadAdaptor::new(bytes);
    let back = Nbt::read_unnamed(&mut reader).expect("reads");
    assert_eq!(back.name, "");
    assert_eq!(back.root_tag, nbt.root_tag);
}

#[test]
fn write_gives_the_encoded_bytes() {
    let nbt = Nbt::new("r".to_string(), NbtCompound::new());
    let bytes = nbt.write();
    assert_eq!(bytes.to_vec(), vec![0x0A, 0x00, 0x01, b'r', 0x00]);
    let unnamed = nbt.write_unnamed();
    assert_eq!(unnamed.to_vec(), vec![0x0A, 0x00]);
}

#[test]
fn int_tag_encoding_is_big_endian() {
    let mut w = WriteAdaptor::new();
    NbtTag::Int(0x01020304).serialize(&mut w).expect("fits");
    assert_eq!(w.into_bytes(), vec![0x03, 0x01, 0x02, 0x03, 0x04]);
}

#[test]
fn nul_and_supplementary_characters_use_modified_utf8() {
    let mut w = WriteAdaptor::new();
    NbtTag::String("\u{0}".to_string()).serialize_data(&mut w).expect("fits");
    assert_eq!(w.into_bytes(), vec![0x00, 0x02, 0xC0, 0x80]);
    let mut w = WriteAdaptor::new();
    NbtTag::String("𝄞".to_string()).serialize_data(&mut w).expect("fits");
    // a surrogate pair, three bytes each
    assert_eq!(w.into_bytes(), vec![0x00, 0x06, 0xED, 0xA0, 0xB4, 0xED, 0xB4, 0x9E]);
}

#[test]
fn strings_decode_from_modified_utf8() {
    let mut reader = ReadAdaptor::new(vec![0x00, 0x02, 0xC0, 0x80]);
    assert_eq!(get_nbt_string(&mut reader).expect("valid"), "\u{0}");
}

#[test]
fn invalid_modified_utf8_is_a_decoding_error() {
    let mut reader = ReadAdaptor::new(vec![0x00, 0x01, 0xFF]);
    assert!(matches!(get_nbt_string(&mut reader), Err(Error::Cesu8DecodingError)));
}

#[test]
fn document_must_start_with_a_compound() {
    let mut reader = ReadAdaptor::new(vec![0x03, 0x00, 0x00]);
    assert!(matches!(Nbt::read(&mut reader), Err(Error::NoRootCompound(3))));
}

#[test]
fn unknown_tag_ids_are_refused() {
    let mut reader = ReadAdaptor::new(vec![0x2A]);
    assert!(matches!(NbtTag::deserialize_data(&mut reader, 0x2A), Err(Error::UnknownTagId(0x2A))));
}

#[test]
fn negative_lengths_are_refused() {
    let mut reader = ReadAdaptor::new(vec![0xFF, 0xFF, 0xFF, 0xFF]);
    assert!(matches!(NbtTag::deserialize_data(&mut reader, 7), Err(Error::NegativeLength(-1))));
}

#[test]
fn truncated_input_is_incomplete() {
    let mut reader = ReadAdaptor::new(vec![0x00, 0x01]);
    assert!(matches!(
        NbtTag::deserialize_data(&mut reader, 3),
        Err(Error::Incomplete(IoErrorKind::UnexpectedEof))
    ));
}

#[test]
fn overlong_strings_are_refused() {
    let long = "x".repeat(70000);
    let mut w = WriteAdaptor::new();
    assert!(matches!(NbtTag::String(long).serialize(&mut w), Err(Error::LargeLength(70000))));
}

#[test]
fn compound_reading_keeps_the_first_of_repeated_names() {
    // compound: int "a" = 1, int "a" = 2, end
    let data = vec![
        0x03, 0x00, 0x01, b'a', 0, 0, 0, 1, 0x03, 0x00, 0x01, b'a', 0, 0, 0, 2, 0x00,
    ];
    let mut reader = ReadAdaptor::new(data);
    let c = NbtCompound::deserialize_content(&mut reader).expect("reads");
    assert_eq!(c.child_tags.len(), 1);
    assert_eq!(c.get_int("a"), Some(1));
}

#[test]
fn skipping_consumes_what_reading_consumes() {
    let mut w = WriteAdaptor::new();
    NbtTag::Compound(sample_compound()).serialize_data(&mut w).expect("fits");
    let bytes = w.into_bytes();
    let mut r1 = ReadAdaptor::new(bytes.clone());
    NbtTag::deserialize_data(&mut r1, 10).expect("reads");
    let mut r2 = ReadAdaptor::new(bytes);
    NbtTag::skip_data(&mut r2, 10).expect("skips");
    assert_eq!(r1.position(), r2.position());
}

#[test]
fn put_keeps_the_first_value() {
    let mut c = NbtCompound::new();
    c.put_int("k", 1);
    c.put_int("k", 2);
    assert_eq!(c.get_int("k"), Some(1));
    assert_eq!(c.get_long("k"), None);
    assert_eq!(c.get_int("missing"), None);
}

#[test]
fn bool_reads_any_nonzero_byte_as_true() {
    let mut c = NbtCompound::new();
    c.put_byte("b", 5);
    c.put_bool("f", false);
    assert_eq!(c.get_bool("b"), Some(true));
    assert_eq!(c.get_bool("f"), Some(false));
}

#[test]
fn reader_primitives_are_big_endian() {
    let mut r = ReadAdaptor::new(vec![0x12, 0x34, 0xFF, 0x3F, 0x80, 0x00, 0x00]);
    assert_eq!(r.get_u16_be().expect("two bytes"), 0x1234);
    assert_eq!(r.get_i8_be().expect("one byte"), -1);
    assert_eq!(f32::from_bits(r.get_f32_be().expect("four bytes")), 1.0);
    assert!(matches!(r.get_u8_be(), Err(Error::Incomplete(IoErrorKind::UnexpectedEof))));
}

#[test]
fn compound_from_entries_keeps_first_of_each_name() {
    let c = NbtCompound::from_iter(vec![
        ("a".to_string(), NbtTag::Int(1)),
        ("b".to_string(), NbtTag::Byte(2)),
        ("a".to_string(), NbtTag::Int(3)),
    ]);
    assert_eq!(c.child_tags.len(), 2);
    assert_eq!(c.get_int("a"), Some(1));
    assert_eq!(c.get_byte("b"), Some(2));
}

#[test]
fn checked_document_bytes() {
    let nbt = Nbt::new("root".to_string(), sample_compound());
    let named = nbt.try_write_bytes().expect("fits");
    assert_eq!(named.to_vec(), nbt.try_write().unwrap());
    let unnamed = nbt.try_write_unnamed_bytes().expect("fits");
    assert_eq!(unnamed.to_vec(), nbt.try_write_unnamed().unwrap());
}

#[test]
fn refused_string_writes_nothing() {
    let mut w = WriteAdaptor::new();
    let t = NbtTag::String("a".repeat(65536));
    assert!(matches!(t.serialize_data(&mut w), Err(Error::LargeLength(65536))));
    assert!(w.into_bytes().is_empty());
}
