//! The NBT byte format, stated as functions on byte sequences.
use vstd::prelude::*;

use super::bytes::{
    i16_at, i16_bytes, i32_at, i32_bytes, i64_at, i64_bytes, i8_at, i8_bytes, u16_at, u16_bytes,
    u32_at, u32_bytes, u64_at, u64_bytes,
};
use super::error::{eof_error, Error};
use super::java_string::{java_cesu8_decoding, java_cesu8_encoding};
use super::value::{
    NbtValue, BYTE_ARRAY_ID, BYTE_ID, COMPOUND_ID, DOUBLE_ID, END_ID, FLOAT_ID, INT_ARRAY_ID, INT_ID,
    LIST_ID, LONG_ARRAY_ID, LONG_ID, SHORT_ID, STRING_ID,
};

verus! {

/// The numeric id of a tag's type.
pub open spec fn value_type_id(v: NbtValue) -> u8 {
    match v {
        NbtValue::End => END_ID,
        NbtValue::Byte(_) => BYTE_ID,
        NbtValue::Short(_) => SHORT_ID,
        NbtValue::Int(_) => INT_ID,
        NbtValue::Long(_) => LONG_ID,
        NbtValue::Float(_) => FLOAT_ID,
        NbtValue::Double(_) => DOUBLE_ID,
        NbtValue::ByteArray(_) => BYTE_ARRAY_ID,
        NbtValue::String(_) => STRING_ID,
        NbtValue::List(_) => LIST_ID,
        NbtValue::Compound(_) => COMPOUND_ID,
        NbtValue::IntArray(_) => INT_ARRAY_ID,
        NbtValue::LongArray(_) => LONG_ARRAY_ID,
    }
}

/// Whether some entry of `entries` carries the name `key`.
pub open spec fn has_key(entries: Seq<(Seq<char>, NbtValue)>, key: Seq<char>) -> bool {
    exists|i: int| 0 <= i < entries.len() && #[trigger] entries[i].0 == key
}

/// The value of the first entry named `key`.
pub open spec fn lookup(entries: Seq<(Seq<char>, NbtValue)>, key: Seq<char>) -> Option<NbtValue>
    decreases entries.len(),
{
    if entries.len() == 0 {
        None
    } else if entries[0].0 == key {
        Some(entries[0].1)
    } else {
        lookup(entries.drop_first(), key)
    }
}

/// The entries that adding `entries` one by one to an empty compound keeps:
/// an entry whose name is already present is dropped.
pub open spec fn keep_first(entries: Seq<(Seq<char>, NbtValue)>) -> Seq<(Seq<char>, NbtValue)>
    decreases entries.len(),
{
    if entries.len() == 0 {
        entries
    } else {
        let kept = keep_first(entries.drop_last());
        if has_key(kept, entries.last().0) {
            kept
        } else {
            kept.push(entries.last())
        }
    }
}

// ---------------------------------------------------------------- reading

/// A length-prefixed modified-UTF-8 string at `pos`: the text and the position after it.
pub open spec fn parse_string(data: Seq<u8>, pos: int) -> Result<(Seq<char>, int), Error> {
    if pos < 0 || pos + 2 > data.len() {
        Err(eof_error())
    } else {
        let len = u16_at(data, pos) as int;
        if pos + 2 + len > data.len() {
            Err(eof_error())
        } else {
            match java_cesu8_decoding(data.subrange(pos + 2, pos + 2 + len)) {
                Some(s) => Ok((s, pos + 2 + len)),
                None => Err(Error::Cesu8DecodingError),
            }
        }
    }
}

/// The `n` big-endian `i32` values starting at `pos`.
pub open spec fn ints_at(data: Seq<u8>, pos: int, n: nat) -> Seq<i32> {
    Seq::new(n, |i: int| i32_at(data, pos + 4 * i))
}

/// The `n` big-endian `i64` values starting at `pos`.
pub open spec fn longs_at(data: Seq<u8>, pos: int, n: nat) -> Seq<i64> {
    Seq::new(n, |i: int| i64_at(data, pos + 8 * i))
}

/// Reads the payload of a tag of type `id` at `pos`: the value and the position after it.
pub open spec fn parse_payload(data: Seq<u8>, pos: int, id: u8) -> Result<(NbtValue, int), Error>
    decreases data.len() - pos, 1int, 0int,
{
    if pos < 0 || pos > data.len() {
        Err(eof_error())
    } else if id == END_ID {
        Ok((NbtValue::End, pos))
    } else if id == BYTE_ID {
        if pos + 1 <= data.len() {
            Ok((NbtValue::Byte(i8_at(data, pos)), pos + 1))
        } else {
            Err(eof_error())
        }
    } else if id == SHORT_ID {
        if pos + 2 <= data.len() {
            Ok((NbtValue::Short(i16_at(data, pos)), pos + 2))
        } else {
            Err(eof_error())
        }
    } else if id == INT_ID {
        if pos + 4 <= data.len() {
            Ok((NbtValue::Int(i32_at(data, pos)), pos + 4))
        } else {
            Err(eof_error())
        }
    } else if id == LONG_ID {
        if pos + 8 <= data.len() {
            Ok((NbtValue::Long(i64_at(data, pos)), pos + 8))
        } else {
            Err(eof_error())
        }
    } else if id == FLOAT_ID {
        if pos + 4 <= data.len() {
            Ok((NbtValue::Float(u32_at(data, pos)), pos + 4))
        } else {
            Err(eof_error())
        }
    } else if id == DOUBLE_ID {
        if pos + 8 <= data.len() {
            Ok((NbtValue::Double(u64_at(data, pos)), pos + 8))
        } else {
            Err(eof_error())
        }
    } else if id == BYTE_ARRAY_ID {
        if pos + 4 > data.len() {
            Err(eof_error())
        } else {
            let n = i32_at(data, pos);
            if n < 0 {
                Err(Error::NegativeLength(n))
            } else if pos + 4 + n > data.len() {
                Err(eof_error())
            } else {
                Ok((NbtValue::ByteArray(data.subrange(pos + 4, pos + 4 + n)), pos + 4 + n))
            }
        }
    } else if id == STRING_ID {
        match parse_string(data, pos) {
            Ok((s, p)) => Ok((NbtValue::String(s), p)),
            Err(e) => Err(e),
        }
    } else if id == LIST_ID {
        if pos + 5 > data.len() {
            Err(eof_error())
        } else {
            let elem = data[pos];
            let n = i32_at(data, pos + 1);
            if n < 0 {
                Err(Error::NegativeLength(n))
            } else {
                match parse_list_items(data, pos + 5, elem, n as nat) {
                    Ok((items, p)) => Ok((NbtValue::List(items), p)),
                    Err(e) => Err(e),
                }
            }
        }
    } else if id == COMPOUND_ID {
        match parse_entries(data, pos) {
            Ok((entries, p)) => Ok((NbtValue::Compound(keep_first(entries)), p)),
            Err(e) => Err(e),
        }
    } else if id == INT_ARRAY_ID {
        if pos + 4 > data.len() {
            Err(eof_error())
        } else {
            let n = i32_at(data, pos);
            if n < 0 {
                Err(Error::NegativeLength(n))
            } else if pos + 4 + 4 * n > data.len() {
                Err(eof_error())
            } else {
                Ok((NbtValue::IntArray(ints_at(data, pos + 4, n as nat)), pos + 4 + 4 * n))
            }
        }
    } else if id == LONG_ARRAY_ID {
        if pos + 4 > data.len() {
            Err(eof_error())
        } else {
            let n = i32_at(data, pos);
            if n < 0 {
                Err(Error::NegativeLength(n))
            } else if pos + 4 + 8 * n > data.len() {
                Err(eof_error())
            } else {
                Ok((NbtValue::LongArray(longs_at(data, pos + 4, n as nat)), pos + 4 + 8 * n))
            }
        }
    } else {
        Err(Error::UnknownTagId(id))
    }
}

/// Reads `n` payloads of type `id`, one after the other.
pub open spec fn parse_list_items(data: Seq<u8>, pos: int, id: u8, n: nat) -> Result<
    (Seq<NbtValue>, int),
    Error,
>
    decreases data.len() - pos, 2int, n,
{
    if pos < 0 || pos > data.len() {
        Err(eof_error())
    } else if n == 0 {
        Ok((Seq::empty(), pos))
    } else {
        match parse_payload(data, pos, id) {
            Err(e) => Err(e),
            Ok((v, p)) => if pos <= p <= data.len() {
                match parse_list_items(data, p, id, (n - 1) as nat) {
                    Ok((rest, q)) => Ok((seq![v] + rest, q)),
                    Err(e) => Err(e),
                }
            } else {
                Err(eof_error())
            },
        }
    }
}

/// Reads the named entries of a compound up to its end tag; the end of the data
/// also ends the compound.
pub open spec fn parse_entries(data: Seq<u8>, pos: int) -> Result<
    (Seq<(Seq<char>, NbtValue)>, int),
    Error,
>
    decreases data.len() - pos, 0int, 0int,
{
    if pos < 0 || pos > data.len() {
        Err(eof_error())
    } else if pos == data.len() {
        Ok((Seq::empty(), pos))
    } else {
        let id = data[pos];
        if id == END_ID {
            Ok((Seq::empty(), pos + 1))
        } else {
            match parse_string(data, pos + 1) {
                Err(e) => Err(e),
                Ok((name, p1)) => if pos < p1 <= data.len() {
                    match parse_payload(data, p1, id) {
                        Err(e) => Err(e),
                        Ok((v, p2)) => if p1 <= p2 <= data.len() {
                            match parse_entries(data, p2) {
                                Ok((rest, p3)) => Ok((seq![(name, v)] + rest, p3)),
                                Err(e) => Err(e),
                            }
                        } else {
                            Err(eof_error())
                        },
                    }
                } else {
                    Err(eof_error())
                },
            }
        }
    }
}

/// A whole document at `pos`: the compound id, the root name when `named`, and the
/// root entries. Yields the name (empty when unnamed), the kept entries and the
/// position after the document.
pub open spec fn parse_document(data: Seq<u8>, pos: int, named: bool) -> Result<
    (Seq<char>, Seq<(Seq<char>, NbtValue)>, int),
    Error,
> {
    if pos < 0 || pos + 1 > data.len() {
        Err(eof_error())
    } else if data[pos] != COMPOUND_ID {
        Err(Error::NoRootCompound(data[pos]))
    } else {
        let name_res = if named {
            parse_string(data, pos + 1)
        } else {
            Ok((Seq::<char>::empty(), pos + 1))
        };
        match name_res {
            Err(e) => Err(e),
            Ok((name, p)) => match parse_entries(data, p) {
                Ok((entries, q)) => Ok((name, keep_first(entries), q)),
                Err(e) => Err(e),
            },
        }
    }
}

// ---------------------------------------------------------------- skipping

/// `pos + n`, stopping at the end of the data.
pub open spec fn advance(data: Seq<u8>, pos: int, n: int) -> int {
    if pos + n <= data.len() {
        pos + n
    } else {
        data.len() as int
    }
}

/// Skips the payload of a tag of type `id`: the position after it. Fixed-size
/// payloads and byte runs may run past the end, which ends the skip there.
pub open spec fn skip_payload(data: Seq<u8>, pos: int, id: u8) -> Result<int, Error>
    decreases data.len() - pos, 1int, 0int,
{
    if pos < 0 || pos > data.len() {
        Err(eof_error())
    } else if id == END_ID {
        Ok(pos)
    } else if id == BYTE_ID {
        Ok(advance(data, pos, 1))
    } else if id == SHORT_ID {
        Ok(advance(data, pos, 2))
    } else if id == INT_ID || id == FLOAT_ID {
        Ok(advance(data, pos, 4))
    } else if id == LONG_ID || id == DOUBLE_ID {
        Ok(advance(data, pos, 8))
    } else if id == BYTE_ARRAY_ID || id == INT_ARRAY_ID || id == LONG_ARRAY_ID {
        if pos + 4 > data.len() {
            Err(eof_error())
        } else {
            let n = i32_at(data, pos);
            let width: int = if id == BYTE_ARRAY_ID {
                1
            } else if id == INT_ARRAY_ID {
                4
            } else {
                8
            };
            if n < 0 {
                Err(Error::NegativeLength(n))
            } else {
                Ok(advance(data, pos + 4, width * n))
            }
        }
    } else if id == STRING_ID {
        if pos + 2 > data.len() {
            Err(eof_error())
        } else {
            Ok(advance(data, pos + 2, u16_at(data, pos) as int))
        }
    } else if id == LIST_ID {
        if pos + 5 > data.len() {
            Err(eof_error())
        } else {
            let n = i32_at(data, pos + 1);
            if n < 0 {
                Err(Error::NegativeLength(n))
            } else {
                skip_list_items(data, pos + 5, data[pos], n as nat)
            }
        }
    } else if id == COMPOUND_ID {
        skip_entries(data, pos)
    } else {
        Err(Error::UnknownTagId(id))
    }
}

pub open spec fn skip_list_items(data: Seq<u8>, pos: int, id: u8, n: nat) -> Result<int, Error>
    decreases data.len() - pos, 2int, n,
{
    if pos < 0 || pos > data.len() {
        Err(eof_error())
    } else if n == 0 {
        Ok(pos)
    } else {
        match skip_payload(data, pos, id) {
            Err(e) => Err(e),
            Ok(p) => if pos <= p <= data.len() {
                skip_list_items(data, p, id, (n - 1) as nat)
            } else {
                Err(eof_error())
            },
        }
    }
}

pub open spec fn skip_entries(data: Seq<u8>, pos: int) -> Result<int, Error>
    decreases data.len() - pos, 0int, 0int,
{
    if pos < 0 || pos > data.len() {
        Err(eof_error())
    } else if pos == data.len() {
        Ok(pos)
    } else if data[pos] == END_ID {
        Ok(pos + 1)
    } else if pos + 3 > data.len() {
        Err(eof_error())
    } else {
        let p1 = advance(data, pos + 3, u16_at(data, pos + 1) as int);
        match skip_payload(data, p1, data[pos]) {
            Err(e) => Err(e),
            Ok(p2) => if p1 <= p2 <= data.len() {
                skip_entries(data, p2)
            } else {
                Err(eof_error())
            },
        }
    }
}

// ---------------------------------------------------------------- writing

/// The length-prefixed modified-UTF-8 encoding of a string.
pub open spec fn ser_string(s: Seq<char>) -> Result<Seq<u8>, Error> {
    let b = java_cesu8_encoding(s);
    if b.len() > u16::MAX {
        Err(Error::LargeLength(b.len() as usize))
    } else {
        Ok(u16_bytes(b.len() as u16) + b)
    }
}

pub open spec fn ints_bytes(a: Seq<i32>) -> Seq<u8>
    decreases a.len(),
{
    if a.len() == 0 {
        Seq::empty()
    } else {
        ints_bytes(a.drop_last()) + i32_bytes(a.last())
    }
}

pub open spec fn longs_bytes(a: Seq<i64>) -> Seq<u8>
    decreases a.len(),
{
    if a.len() == 0 {
        Seq::empty()
    } else {
        longs_bytes(a.drop_last()) + i64_bytes(a.last())
    }
}

/// The type id written in front of a list: that of its first element, or the
/// end id for an empty list.
pub open spec fn list_elem_id(items: Seq<NbtValue>) -> u8 {
    if items.len() == 0 {
        END_ID
    } else {
        value_type_id(items[0])
    }
}

/// The encoding of a tag's payload, or the first length that does not fit.
pub open spec fn ser_payload(v: NbtValue) -> Result<Seq<u8>, Error>
    decreases v,
{
    match v {
        NbtValue::End => Ok(Seq::empty()),
        NbtValue::Byte(x) => Ok(i8_bytes(x)),
        NbtValue::Short(x) => Ok(i16_bytes(x)),
        NbtValue::Int(x) => Ok(i32_bytes(x)),
        NbtValue::Long(x) => Ok(i64_bytes(x)),
        NbtValue::Float(x) => Ok(u32_bytes(x)),
        NbtValue::Double(x) => Ok(u64_bytes(x)),
        NbtValue::ByteArray(a) => if a.len() > i32::MAX {
            Err(Error::LargeLength(a.len() as usize))
        } else {
            Ok(i32_bytes(a.len() as i32) + a)
        },
        NbtValue::String(s) => ser_string(s),
        NbtValue::List(items) => if items.len() > i32::MAX {
            Err(Error::LargeLength(items.len() as usize))
        } else {
            match ser_items(items) {
                Ok(b) => Ok(seq![list_elem_id(items)] + i32_bytes(items.len() as i32) + b),
                Err(e) => Err(e),
            }
        },
        NbtValue::Compound(entries) => match ser_entries(entries) {
            Ok(b) => Ok(b.push(END_ID)),
            Err(e) => Err(e),
        },
        NbtValue::IntArray(a) => if a.len() > i32::MAX {
            Err(Error::LargeLength(a.len() as usize))
        } else {
            Ok(i32_bytes(a.len() as i32) + ints_bytes(a))
        },
        NbtValue::LongArray(a) => if a.len() > i32::MAX {
            Err(Error::LargeLength(a.len() as usize))
        } else {
            Ok(i32_bytes(a.len() as i32) + longs_bytes(a))
        },
    }
}

/// The payloads of list items, one after the other.
pub open spec fn ser_items(items: Seq<NbtValue>) -> Result<Seq<u8>, Error>
    decreases items,
{
    if items.len() == 0 {
        Ok(Seq::empty())
    } else {
        match ser_items(items.drop_last()) {
            Err(e) => Err(e),
            Ok(b) => match ser_payload(items[items.len() - 1]) {
                Ok(c) => Ok(b + c),
                Err(e) => Err(e),
            },
        }
    }
}

/// The entries of a compound, without the closing end tag.
pub open spec fn ser_entries(entries: Seq<(Seq<char>, NbtValue)>) -> Result<Seq<u8>, Error>
    decreases entries,
{
    if entries.len() == 0 {
        Ok(Seq::empty())
    } else {
        match ser_entries(entries.drop_last()) {
            Err(e) => Err(e),
            Ok(b) => match ser_string(entries[entries.len() - 1].0) {
                Err(e) => Err(e),
                Ok(n) => match ser_payload(entries[entries.len() - 1].1) {
                    Ok(p) => Ok(b + seq![value_type_id(entries[entries.len() - 1].1)] + n + p),
                    Err(e) => Err(e),
                },
            },
        }
    }
}

// ---------------------------------------------------------------- string facts

/// Decoding the encoding of `s` gives `s` back.
pub open spec fn string_roundtrips(s: Seq<char>) -> bool {
    java_cesu8_decoding(java_cesu8_encoding(s)) == Some(s)
}

/// Every string inside `v` (values and names) decodes back from its encoding.
pub open spec fn strings_roundtrip(v: NbtValue) -> bool
    decreases v,
{
    match v {
        NbtValue::String(s) => string_roundtrips(s),
        NbtValue::List(items) => items_strings_roundtrip(items),
        NbtValue::Compound(entries) => entries_strings_roundtrip(entries),
        _ => true,
    }
}

pub open spec fn items_strings_roundtrip(items: Seq<NbtValue>) -> bool
    decreases items,
{
    if items.len() == 0 {
        true
    } else {
        items_strings_roundtrip(items.drop_last()) && strings_roundtrip(items[items.len() - 1])
    }
}

pub open spec fn entries_strings_roundtrip(entries: Seq<(Seq<char>, NbtValue)>) -> bool
    decreases entries,
{
    if entries.len() == 0 {
        true
    } else {
        entries_strings_roundtrip(entries.drop_last()) && string_roundtrips(
            entries[entries.len() - 1].0,
        ) && strings_roundtrip(entries[entries.len() - 1].1)
    }
}

/// The encoding of a whole document: compound id, the root name when `named`,
/// then the root entries and their end tag.
pub open spec fn ser_document(name: Seq<char>, entries: Seq<(Seq<char>, NbtValue)>, named: bool) -> Result<
    Seq<u8>,
    Error,
> {
    let name_res = if named {
        ser_string(name)
    } else {
        Ok(Seq::<u8>::empty())
    };
    match name_res {
        Err(e) => Err(e),
        Ok(n) => match ser_payload(NbtValue::Compound(entries)) {
            Ok(b) => Ok(seq![COMPOUND_ID] + n + b),
            Err(e) => Err(e),
        },
    }
}

} // verus!
