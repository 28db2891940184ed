use vstd::prelude::*;

use super::format::value_type_id;
use super::value::{
    list_values, NbtCompound, NbtTag, NbtValue, BYTE_ARRAY_ID, BYTE_ID, COMPOUND_ID, DOUBLE_ID, END_ID, FLOAT_ID,
    INT_ARRAY_ID, INT_ID, LIST_ID, LONG_ARRAY_ID, LONG_ID, SHORT_ID, STRING_ID,
};

verus! {

impl NbtTag {
    /// Returns the numeric id associated with the data type.
    pub fn get_type_id(&self) -> (id: u8)
        ensures
            id == value_type_id(self@),
    {
        match self {
            NbtTag::End => END_ID,
            NbtTag::Byte(_) => BYTE_ID,
            NbtTag::Short(_) => SHORT_ID,
            NbtTag::Int(_) => INT_ID,
            NbtTag::Long(_) => LONG_ID,
            NbtTag::Float(_) => FLOAT_ID,
            NbtTag::Double(_) => DOUBLE_ID,
            NbtTag::ByteArray(_) => BYTE_ARRAY_ID,
            NbtTag::String(_) => STRING_ID,
            NbtTag::List(_) => LIST_ID,
            NbtTag::Compound(_) => COMPOUND_ID,
            NbtTag::IntArray(_) => INT_ARRAY_ID,
            NbtTag::LongArray(_) => LONG_ARRAY_ID,
        }
    }

    pub fn extract_byte(&self) -> (r: Option<i8>)
        ensures
            r == match self@ {
                NbtValue::Byte(v) => Some(v),
                _ => None::<i8>,
            },
    {
        match self {
            NbtTag::Byte(v) => Some(*v),
            _ => None,
        }
    }

    pub fn extract_short(&self) -> (r: Option<i16>)
        ensures
            r == match self@ {
                NbtValue::Short(v) => Some(v),
                _ => None::<i16>,
            },
    {
        match self {
            NbtTag::Short(v) => Some(*v),
            _ => None,
        }
    }

    pub fn extract_int(&self) -> (r: Option<i32>)
        ensures
            r == match self@ {
                NbtValue::Int(v) => Some(v),
                _ => None::<i32>,
            },
    {
        match self {
            NbtTag::Int(v) => Some(*v),
            _ => None,
        }
    }

    pub fn extract_long(&self) -> (r: Option<i64>)
        ensures
            r == match self@ {
                NbtValue::Long(v) => Some(v),
                _ => None::<i64>,
            },
    {
        match self {
            NbtTag::Long(v) => Some(*v),
            _ => None,
        }
    }

    /// The bit pattern of a float tag.
    pub fn extract_float(&self) -> (r: Option<u32>)
        ensures
            r == match self@ {
                NbtValue::Float(v) => Some(v),
                _ => None::<u32>,
            },
    {
        match self {
            NbtTag::Float(v) => Some(*v),
            _ => None,
        }
    }

    /// The bit pattern of a double tag.
    pub fn extract_double(&self) -> (r: Option<u64>)
        ensures
            r == match self@ {
                NbtValue::Double(v) => Some(v),
                _ => None::<u64>,
            },
    {
        match self {
            NbtTag::Double(v) => Some(*v),
            _ => None,
        }
    }

    /// A byte tag read as a flag: any non-zero byte is `true`.
    pub fn extract_bool(&self) -> (r: Option<bool>)
        ensures
            r == match self@ {
                NbtValue::Byte(v) => Some(v != 0),
                _ => None::<bool>,
            },
    {
        match self {
            NbtTag::Byte(v) => Some(*v != 0),
            _ => None,
        }
    }

    /// A copy of the bytes of a byte-array tag.
    pub fn extract_byte_array(&self) -> (r: Option<Vec<u8>>)
        ensures
            r is Some <==> self@ is ByteArray,
            r is Some ==> self@ == NbtValue::ByteArray(r->Some_0@),
    {
        match self {
            NbtTag::ByteArray(a) => Some(a.clone()),
            _ => None,
        }
    }

    pub fn extract_string(&self) -> (r: Option<&String>)
        ensures
            r is Some <==> self@ is String,
            r is Some ==> self@ == NbtValue::String(r->Some_0@),
    {
        match self {
            NbtTag::String(s) => Some(s),
            _ => None,
        }
    }

    pub fn extract_list(&self) -> (r: Option<&[NbtTag]>)
        ensures
            r is Some <==> self@ is List,
            r is Some ==> self@ == NbtValue::List(list_values(r->Some_0@)),
    {
        match self {
            NbtTag::List(l) => Some(l.as_slice()),
            _ => None,
        }
    }

    pub fn extract_compound(&self) -> (r: Option<&NbtCompound>)
        ensures
            r is Some <==> self@ is Compound,
            r is Some ==> self@ == NbtValue::Compound(r->Some_0@),
    {
        match self {
            NbtTag::Compound(c) => Some(c),
            _ => None,
        }
    }

    pub fn extract_int_array(&self) -> (r: Option<&[i32]>)
        ensures
            r is Some <==> self@ is IntArray,
            r is Some ==> self@ == NbtValue::IntArray(r->Some_0@),
    {
        match self {
            NbtTag::IntArray(a) => Some(a.as_slice()),
            _ => None,
        }
    }

    pub fn extract_long_array(&self) -> (r: Option<&[i64]>)
        ensures
            r is Some <==> self@ is LongArray,
            r is Some ==> self@ == NbtValue::LongArray(r->Some_0@),
    {
        match self {
            NbtTag::LongArray(a) => Some(a.as_slice()),
            _ => None,
        }
    }
}

} // verus!
