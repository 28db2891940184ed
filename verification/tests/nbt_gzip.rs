use pumpkin::nbt::compress::{
    read_gzip_compound_tag, try_write_gzip_compound_tag, write_gzip_compound_tag,
    write_gzip_compound_tag_to_bytes,
};
use pumpkin::nbt::value::{NbtCompound, NbtTag};

#[test]
fn test_gzip_read_write_compound() {
    // Create a test compound
    let mut compound = NbtCompound::new();
    compound.put_byte("byte_value", 123);
    compound.put_short("short_value", 12345);
    compound.put_int("int_value", 1234567);
    compound.put_long("long_value", 123456789);
    compound.put_float("float_value", 123.456f32.to_bits());
    compound.put_double("double_value", 123456.789f64.to_bits());
    compound.put_bool("bool_value", true);
    compound.put("string_value", NbtTag::String("test string".to_string()));

    // Create a nested compound
    let mut nested = NbtCompound::new();
    nested.put_int("nested_int", 42);
    compound.put_component("nested_compound", nested);

    let mut buffer = Vec::new();
    write_gzip_compound_tag(&compound, &mut buffer).expect("Failed to compress compound");

    let read_compound = read_gzip_compound_tag(&buffer).expect("Failed to decompress compound");

    assert_eq!(read_compound.get_byte("byte_value"), Some(123));
    assert_eq!(read_compound.get_short("short_value"), Some(12345));
    assert_eq!(read_compound.get_int("int_value"), Some(1234567));
    assert_eq!(read_compound.get_long("long_value"), Some(123456789));
    assert_eq!(read_compound.get_float("float_value").map(f32::from_bits), Some(123.456));
    assert_eq!(read_compound.get_double("double_value").map(f64::from_bits), Some(123456.789));
    assert_eq!(read_compound.get_bool("bool_value"), Some(true));
    assert_eq!(
        read_compound.get_string("string_value").map(String::as_str),
        Some("test string")
    );

    if let Some(nested) = read_compound.get_compound("nested_compound") {
        assert_eq!(nested.get_int("nested_int"), Some(42));
    } else {
        panic!("Failed to retrieve nested compound");
    }
}

#[test]
fn test_gzip_convenience_methods() {
    let mut compound = NbtCompound::new();
    compound.put_int("test_value", 12345);

    let buffer = write_gzip_compound_tag_to_bytes(&compound).expect("Failed to compress compound");

    let read_compound = read_gzip_compound_tag(&buffer).expect("Failed to decompress compound");

    assert_eq!(read_compound.get_int("test_value"), Some(12345));
}

#[test]
fn test_gzip_empty_compound() {
    let compound = NbtCompound::new();
    let mut buffer = Vec::new();
    write_gzip_compound_tag(&compound, &mut buffer).expect("Failed to compress empty compound");
    let read_compound =
        read_gzip_compound_tag(&buffer).expect("Failed to decompress empty compound");

    assert_eq!(read_compound.child_tags.len(), 0);
}

#[test]
fn test_gzip_large_compound() {
    let mut compound = NbtCompound::new();

    for i in 0..1000 {
        compound.put_int(&format!("value_{}", i), i);
    }

    let mut buffer = Vec::new();
    write_gzip_compound_tag(&compound, &mut buffer).expect("Failed to compress large compound");
    let read_compound =
        read_gzip_compound_tag(&buffer).expect("Failed to decompress large compound");

    assert_eq!(read_compound.child_tags.len(), 1000);

    assert_eq!(read_compound.get_int("value_0"), Some(0));
    assert_eq!(read_compound.get_int("value_500"), Some(500));
    assert_eq!(read_compound.get_int("value_999"), Some(999));
}

#[test]
fn test_gzip_compression_ratio() {
    let mut compound = NbtCompound::new();

    for _i in 0..1000 {
        compound.put(
            "repeated_key",
            NbtTag::String(
                "this is a test string that will be repeated many times to demonstrate compression"
                    .to_string(),
            ),
        );
    }

    let uncompressed = compound.child_tags.len() * 100;
    let mut buffer = Vec::new();
    write_gzip_compound_tag(&compound, &mut buffer).expect("Failed to compress compound");

    println!("Uncompressed size (est): {} bytes", uncompressed);
    println!("Compressed size: {} bytes", buffer.len());
    println!(
        "Compression ratio: {:.2}x",
        uncompressed as f64 / buffer.len() as f64
    );

    let _ = read_gzip_compound_tag(&buffer).expect("Failed to decompress compound");
}

#[test]
fn test_gzip_invalid_data() {
    let invalid_data = vec![1, 2, 3, 4, 5];
    let result = read_gzip_compound_tag(&invalid_data);
    assert!(result.is_err());
}

#[test]
fn checked_gzip_write_reads_back_or_refuses() {
    let mut compound = NbtCompound::new();
    compound.put_int("x", 5);
    let bytes = try_write_gzip_compound_tag(&compound).expect("fits");
    assert_eq!(read_gzip_compound_tag(&bytes).unwrap().get_int("x"), Some(5));
    let mut too_long = NbtCompound::new();
    too_long.put("s", NbtTag::String("a".repeat(70000)));
    assert!(matches!(try_write_gzip_compound_tag(&too_long), Err(pumpkin::nbt::error::Error::LargeLength(_))));
}
