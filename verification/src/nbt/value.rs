use vstd::prelude::*;

verus! {

pub const END_ID: u8 = 0x00;
pub const BYTE_ID: u8 = 0x01;
pub const SHORT_ID: u8 = 0x02;
pub const INT_ID: u8 = 0x03;
pub const LONG_ID: u8 = 0x04;
pub const FLOAT_ID: u8 = 0x05;
pub const DOUBLE_ID: u8 = 0x06;
pub const BYTE_ARRAY_ID: u8 = 0x07;
pub const STRING_ID: u8 = 0x08;
pub const LIST_ID: u8 = 0x09;
pub const COMPOUND_ID: u8 = 0x0A;
pub const INT_ARRAY_ID: u8 = 0x0B;
pub const LONG_ARRAY_ID: u8 = 0x0C;

/// The mathematical value of an NBT tag. Floating point payloads are held
/// by their IEEE-754 bit patterns.
pub ghost enum NbtValue {
    End,
    Byte(i8),
    Short(i16),
    Int(i32),
    Long(i64),
    Float(u32),
    Double(u64),
    ByteArray(Seq<u8>),
    String(Seq<char>),
    List(Seq<NbtValue>),
    Compound(Seq<(Seq<char>, NbtValue)>),
    IntArray(Seq<i32>),
    LongArray(Seq<i64>),
}

/// An NBT tag. `Float` and `Double` carry the bit patterns of their values.
#[derive(Debug, PartialEq)]
pub enum NbtTag {
    End,
    Byte(i8),
    Short(i16),
    Int(i32),
    Long(i64),
    Float(u32),
    Double(u64),
    ByteArray(Vec<u8>),
    String(String),
    List(Vec<NbtTag>),
    Compound(NbtCompound),
    IntArray(Vec<i32>),
    LongArray(Vec<i64>),
}

/// An ordered collection of named tags.
#[derive(Debug, PartialEq, Default)]
pub struct NbtCompound {
    pub child_tags: Vec<(String, NbtTag)>,
}

pub open spec fn tag_value(t: NbtTag) -> NbtValue
    decreases t,
{
    match t {
        NbtTag::End => NbtValue::End,
        NbtTag::Byte(v) => NbtValue::Byte(v),
        NbtTag::Short(v) => NbtValue::Short(v),
        NbtTag::Int(v) => NbtValue::Int(v),
        NbtTag::Long(v) => NbtValue::Long(v),
        NbtTag::Float(v) => NbtValue::Float(v),
        NbtTag::Double(v) => NbtValue::Double(v),
        NbtTag::ByteArray(v) => NbtValue::ByteArray(v@),
        NbtTag::String(v) => NbtValue::String(v@),
        NbtTag::List(v) => NbtValue::List(list_values(v@)),
        NbtTag::Compound(c) => NbtValue::Compound(entry_values(c.child_tags@)),
        NbtTag::IntArray(v) => NbtValue::IntArray(v@),
        NbtTag::LongArray(v) => NbtValue::LongArray(v@),
    }
}

pub open spec fn list_values(s: Seq<NbtTag>) -> Seq<NbtValue>
    decreases s,
{
    if s.len() == 0 {
        Seq::empty()
    } else {
        list_values(s.drop_last()).push(tag_value(s.last()))
    }
}

pub open spec fn entry_values(s: Seq<(String, NbtTag)>) -> Seq<(Seq<char>, NbtValue)>
    decreases s,
{
    if s.len() == 0 {
        Seq::empty()
    } else {
        entry_values(s.drop_last()).push((s.last().0@, tag_value(s.last().1)))
    }
}

impl View for NbtTag {
    type V = NbtValue;

    open spec fn view(&self) -> NbtValue {
        tag_value(*self)
    }
}

impl View for NbtCompound {
    type V = Seq<(Seq<char>, NbtValue)>;

    open spec fn view(&self) -> Seq<(Seq<char>, NbtValue)> {
        entry_values(self.child_tags@)
    }
}

} // verus!
